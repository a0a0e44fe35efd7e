//! Paths and names as bytes: the file name of a path, its extension, the
//! namespace that a dotted name spells, and the order of names.

use crate::ascii::{DOT, SLASH};
use vstd::prelude::*;

verus! {

/// The offset of the last byte of `s` that equals `b`, or -1.
pub open spec fn last_index_of(s: Seq<u8>, b: u8) -> int
    decreases s.len(),
{
    if s.len() == 0 {
        -1
    } else if s.last() == b {
        s.len() - 1
    } else {
        last_index_of(s.drop_last(), b)
    }
}

/// The last offset of a byte: the byte stands there, and nowhere after.
pub proof fn lemma_last_index_of(s: Seq<u8>, b: u8)
    ensures
        -1 <= last_index_of(s, b) < s.len(),
        last_index_of(s, b) >= 0 ==> s[last_index_of(s, b)] == b,
        forall|j: int| last_index_of(s, b) < j < s.len() ==> s[j] != b,
    decreases s.len(),
{
    if s.len() > 0 && s.last() != b {
        let t = s.drop_last();
        lemma_last_index_of(t, b);
        assert forall|j: int| last_index_of(s, b) < j < s.len() implies s[j] != b by {
            if j < t.len() {
                assert(t[j] == s[j]);
            }
        }
    }
}

/// What follows the last `/` of a path; all of it, if it holds none.
pub open spec fn base_name(path: Seq<u8>) -> Seq<u8> {
    path.subrange(last_index_of(path, SLASH) + 1, path.len() as int)
}

/// The file name of a path: what follows its last `/`, unless that is
/// empty, `.` or `..`.
pub open spec fn file_name(path: Seq<u8>) -> Option<Seq<u8>> {
    let base = base_name(path);
    if base.len() == 0 || base == seq![DOT] || base == seq![DOT, DOT] {
        None
    } else {
        Some(base)
    }
}

/// The extension of a path: what follows the last `.` of its file name. A
/// file name without a `.`, or with none but a leading one, has no
/// extension.
pub open spec fn extension(path: Seq<u8>) -> Option<Seq<u8>> {
    match file_name(path) {
        None => None,
        Some(base) => {
            let dot = last_index_of(base, DOT);
            if dot <= 0 {
                None
            } else {
                Some(base.subrange(dot + 1, base.len() as int))
            }
        },
    }
}

/// The file name of a path without its extension.
pub open spec fn file_stem(path: Seq<u8>) -> Option<Seq<u8>> {
    match file_name(path) {
        None => None,
        Some(base) => {
            let dot = last_index_of(base, DOT);
            if dot <= 0 {
                Some(base)
            } else {
                Some(base.subrange(0, dot))
            }
        },
    }
}

/// The segments of a dotted name, the last one first.
pub open spec fn package_of(stem: Seq<u8>) -> Seq<Seq<u8>>
    decreases stem.len(),
{
    let dot = last_index_of(stem, DOT);
    if dot < 0 || dot >= stem.len() {
        seq![stem]
    } else {
        seq![stem.subrange(dot + 1, stem.len() as int)] + package_of(stem.subrange(0, dot))
    }
}

/// A path below `base`: the two joined by one `/`, which is left out where
/// `base` is empty or ends in one.
pub open spec fn join(base: Seq<u8>, name: Seq<u8>) -> Seq<u8> {
    if base.len() == 0 || base.last() == SLASH {
        base + name
    } else {
        base + seq![SLASH] + name
    }
}

/// The path that leads from `base` to `path`, if `path` is `base` or lies
/// below it.
pub open spec fn relative_to(path: Seq<u8>, base: Seq<u8>) -> Option<Seq<u8>> {
    if !base.is_prefix_of(path) {
        None
    } else if base.len() == 0 || base.last() == SLASH || path.len() == base.len() {
        Some(path.subrange(base.len() as int, path.len() as int))
    } else if path[base.len() as int] == SLASH {
        Some(path.subrange(base.len() as int + 1, path.len() as int))
    } else {
        None
    }
}

/// The order of names: byte by byte, a name before every longer name that
/// begins with it.
pub open spec fn lex_lt(a: Seq<u8>, b: Seq<u8>) -> bool
    decreases a.len(),
{
    if b.len() == 0 {
        false
    } else if a.len() == 0 {
        true
    } else if a[0] != b[0] {
        a[0] < b[0]
    } else {
        lex_lt(a.drop_first(), b.drop_first())
    }
}

/// The views of some byte strings.
pub open spec fn views(v: Seq<Vec<u8>>) -> Seq<Seq<u8>> {
    Seq::new(v.len(), |i: int| v[i]@)
}

/// No name comes before itself, and of two names at most one comes before
/// the other.
pub proof fn lemma_lex_asymmetric(a: Seq<u8>, b: Seq<u8>)
    ensures
        !(lex_lt(a, b) && lex_lt(b, a)),
        !lex_lt(a, a),
    decreases a.len(),
{
    if a.len() > 0 {
        lemma_lex_asymmetric(a.drop_first(), a.drop_first());
        if b.len() > 0 {
            lemma_lex_asymmetric(a.drop_first(), b.drop_first());
        }
    }
}

/// Of two different names one comes before the other.
pub proof fn lemma_lex_total(a: Seq<u8>, b: Seq<u8>)
    ensures
        a == b || lex_lt(a, b) || lex_lt(b, a),
    decreases a.len(),
{
    if a.len() > 0 && b.len() > 0 && a[0] == b[0] {
        lemma_lex_total(a.drop_first(), b.drop_first());
        if a.drop_first() == b.drop_first() {
            assert(a =~= seq![a[0]] + a.drop_first());
        }
    }
}

/// What comes before a name comes before every name after it.
pub proof fn lemma_lex_transitive(a: Seq<u8>, b: Seq<u8>, c: Seq<u8>)
    requires
        lex_lt(a, b),
        lex_lt(b, c),
    ensures
        lex_lt(a, c),
    decreases a.len(),
{
    if a.len() > 0 && a[0] == b[0] && b[0] == c[0] {
        lemma_lex_transitive(a.drop_first(), b.drop_first(), c.drop_first());
    }
}

/// Appends the bytes of `src` from offset `from` up to, not including,
/// offset `to`.
pub fn append(dst: &mut Vec<u8>, src: &[u8], from: usize, to: usize)
    requires
        from <= to <= src@.len(),
    ensures
        final(dst)@ == old(dst)@ + src@.subrange(from as int, to as int),
{
    let mut i: usize = from;
    while i < to
        invariant
            from <= i <= to <= src@.len(),
            dst@ == old(dst)@ + src@.subrange(from as int, i as int),
        decreases to - i,
    {
        dst.push(src[i]);
        i += 1;
    }
}

/// The bytes of `src` from offset `from` up to, not including, offset `to`.
pub fn slice(src: &[u8], from: usize, to: usize) -> (r: Vec<u8>)
    requires
        from <= to <= src@.len(),
    ensures
        r@ == src@.subrange(from as int, to as int),
{
    let mut r = Vec::new();
    append(&mut r, src, from, to);
    r
}

/// A copy of some bytes.
pub fn copy(bytes: &[u8]) -> (r: Vec<u8>)
    ensures
        r@ == bytes@,
{
    slice(bytes, 0, bytes.len())
}

/// Tells whether two byte strings are equal.
pub fn bytes_eq(a: &[u8], b: &[u8]) -> (r: bool)
    ensures
        r == (a@ == b@),
{
    if a.len() != b.len() {
        return false;
    }
    let mut i: usize = 0;
    while i < a.len()
        invariant
            i <= a@.len(),
            a@.len() == b@.len(),
            a@.subrange(0, i as int) == b@.subrange(0, i as int),
        decreases a@.len() - i,
    {
        if a[i] != b[i] {
            return false;
        }
        i += 1;
    }
    assert(a@ =~= a@.subrange(0, i as int));
    assert(b@ =~= b@.subrange(0, i as int));
    true
}

/// Tells whether the name `a` comes before the name `b`.
pub fn bytes_lt(a: &[u8], b: &[u8]) -> (r: bool)
    ensures
        r == lex_lt(a@, b@),
{
    let mut i: usize = 0;
    assert(a@.skip(0) =~= a@);
    assert(b@.skip(0) =~= b@);
    while i < a.len() && i < b.len()
        invariant
            i <= a@.len(),
            i <= b@.len(),
            lex_lt(a@, b@) == lex_lt(a@.skip(i as int), b@.skip(i as int)),
        decreases a@.len() - i,
    {
        assert(a@.skip(i as int).drop_first() =~= a@.skip(i + 1));
        assert(b@.skip(i as int).drop_first() =~= b@.skip(i + 1));
        if a[i] != b[i] {
            return a[i] < b[i];
        }
        i += 1;
    }
    i < b.len()
}

/// The offset of the last byte among the first `end` of `s` that equals
/// `b`.
pub fn find_last(s: &[u8], b: u8, end: usize) -> (r: Option<usize>)
    requires
        end <= s@.len(),
    ensures
        match r {
            Some(i) => i == last_index_of(s@.subrange(0, end as int), b),
            None => last_index_of(s@.subrange(0, end as int), b) == -1,
        },
{
    let mut i: usize = end;
    while i > 0
        invariant
            i <= end <= s@.len(),
            last_index_of(s@.subrange(0, end as int), b) == last_index_of(
                s@.subrange(0, i as int),
                b,
            ),
        decreases i,
    {
        if s[i - 1] == b {
            return Some(i - 1);
        }
        assert(s@.subrange(0, i as int).drop_last() =~= s@.subrange(0, i - 1));
        i -= 1;
    }
    None
}

/// The file name of a path.
pub fn get_file_name(path: &[u8]) -> (r: Option<Vec<u8>>)
    ensures
        match r {
            Some(name) => file_name(path@) == Some(name@),
            None => file_name(path@) is None,
        },
{
    assert(path@.subrange(0, path@.len() as int) =~= path@);
    proof {
        lemma_last_index_of(path@, SLASH);
    }
    let start = match find_last(path, SLASH, path.len()) {
        Some(i) => i + 1,
        None => 0,
    };
    let base = slice(path, start, path.len());
    if base.len() == 0 {
        None
    } else if base.len() == 1 && base[0] == DOT {
        assert(base@ =~= seq![DOT]);
        None
    } else if base.len() == 2 && base[0] == DOT && base[1] == DOT {
        assert(base@ =~= seq![DOT, DOT]);
        None
    } else {
        Some(base)
    }
}

/// Tells whether the extension of a path is `ext`.
pub fn has_extension(path: &[u8], ext: &[u8]) -> (r: bool)
    ensures
        r == (extension(path@) == Some(ext@)),
{
    match get_file_name(path) {
        None => false,
        Some(base) => {
            assert(base@.subrange(0, base@.len() as int) =~= base@);
            proof {
                lemma_last_index_of(base@, DOT);
            }
            match find_last(base.as_slice(), DOT, base.len()) {
                Some(dot) => if dot > 0 {
                    let found = slice(base.as_slice(), dot + 1, base.len());
                    bytes_eq(found.as_slice(), ext)
                } else {
                    false
                },
                None => false,
            }
        },
    }
}

/// The file name of a path without its extension.
pub fn get_file_stem(path: &[u8]) -> (r: Option<Vec<u8>>)
    ensures
        match r {
            Some(stem) => file_stem(path@) == Some(stem@),
            None => file_stem(path@) is None,
        },
{
    match get_file_name(path) {
        None => None,
        Some(base) => {
            assert(base@.subrange(0, base@.len() as int) =~= base@);
            proof {
                lemma_last_index_of(base@, DOT);
            }
            match find_last(base.as_slice(), DOT, base.len()) {
                Some(dot) => if dot > 0 {
                    Some(slice(base.as_slice(), 0, dot))
                } else {
                    Some(base)
                },
                None => Some(base),
            }
        },
    }
}

/// The segments of a dotted name, the last one first.
pub fn get_package(stem: &[u8]) -> (parts: Vec<Vec<u8>>)
    ensures
        views(parts@) == package_of(stem@),
{
    let mut parts: Vec<Vec<u8>> = Vec::new();
    let mut end: usize = stem.len();
    assert(stem@.subrange(0, end as int) =~= stem@);
    loop
        invariant_except_break
            end <= stem@.len(),
            package_of(stem@) == views(parts@) + package_of(stem@.subrange(0, end as int)),
        ensures
            views(parts@) == package_of(stem@),
        decreases end,
    {
        let ghost rest = stem@.subrange(0, end as int);
        let ghost before = parts@;
        proof {
            lemma_last_index_of(rest, DOT);
        }
        match find_last(stem, DOT, end) {
            Some(dot) => {
                parts.push(slice(stem, dot + 1, end));
                assert(rest.subrange(dot + 1, rest.len() as int) =~= stem@.subrange(
                    dot + 1,
                    end as int,
                ));
                assert(rest.subrange(0, dot as int) =~= stem@.subrange(0, dot as int));
                assert(views(parts@) =~= views(before) + seq![
                    stem@.subrange(dot + 1, end as int),
                ]);
                end = dot;
            },
            None => {
                parts.push(slice(stem, 0, end));
                break ;
            },
        }
    }
    parts
}

/// Tells whether `path` begins with the bytes of `base`.
pub fn starts_with(path: &[u8], base: &[u8]) -> (r: bool)
    ensures
        r == base@.is_prefix_of(path@),
{
    if base.len() > path.len() {
        return false;
    }
    let head = slice(path, 0, base.len());
    bytes_eq(head.as_slice(), base)
}

/// A path below `base`.
pub fn get_join(base: &[u8], name: &[u8]) -> (r: Vec<u8>)
    ensures
        r@ == join(base@, name@),
{
    let mut r = copy(base);
    if base.len() > 0 && base[base.len() - 1] != SLASH {
        r.push(SLASH);
    }
    append(&mut r, name, 0, name.len());
    r
}

/// The path that leads from `base` to `path`.
pub fn get_relative(path: &[u8], base: &[u8]) -> (r: Option<Vec<u8>>)
    ensures
        match r {
            Some(rel) => relative_to(path@, base@) == Some(rel@),
            None => relative_to(path@, base@) is None,
        },
{
    if !starts_with(path, base) {
        None
    } else if base.len() == 0 || base[base.len() - 1] == SLASH || path.len() == base.len() {
        Some(slice(path, base.len(), path.len()))
    } else if path[base.len()] == SLASH {
        Some(slice(path, base.len() + 1, path.len()))
    } else {
        None
    }
}

/// A path leads from `base` to what was joined to it.
pub proof fn lemma_relative_join(base: Seq<u8>, name: Seq<u8>)
    ensures
        relative_to(join(base, name), base) == Some(name),
{
}

} // verus!
