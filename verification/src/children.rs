//! Children in the order of their names: what finding and placing a child
//! do.

use crate::namespace::{ascending, get, names, put, rank, NodeView};
use crate::path::{lemma_lex_asymmetric, lemma_lex_total, lemma_lex_transitive, lex_lt};
use vstd::prelude::*;

verus! {

/// The order of three names: total and asymmetric on each two, and
/// transitive.
pub proof fn lemma_lex_order(a: Seq<u8>, b: Seq<u8>, c: Seq<u8>)
    ensures
        !lex_lt(a, a) && !lex_lt(b, b) && !lex_lt(c, c),
        !(lex_lt(a, b) && lex_lt(b, a)),
        !(lex_lt(a, c) && lex_lt(c, a)),
        !(lex_lt(b, c) && lex_lt(c, b)),
        a == b || lex_lt(a, b) || lex_lt(b, a),
        a == c || lex_lt(a, c) || lex_lt(c, a),
        b == c || lex_lt(b, c) || lex_lt(c, b),
        lex_lt(a, b) && lex_lt(b, c) ==> lex_lt(a, c),
        lex_lt(a, c) && lex_lt(c, b) ==> lex_lt(a, b),
        lex_lt(b, a) && lex_lt(a, c) ==> lex_lt(b, c),
        lex_lt(b, c) && lex_lt(c, a) ==> lex_lt(b, a),
        lex_lt(c, a) && lex_lt(a, b) ==> lex_lt(c, b),
        lex_lt(c, b) && lex_lt(b, a) ==> lex_lt(c, a),
{
    lemma_lex_asymmetric(a, b);
    lemma_lex_asymmetric(a, c);
    lemma_lex_asymmetric(b, c);
    lemma_lex_asymmetric(c, c);
    lemma_lex_total(a, b);
    lemma_lex_total(a, c);
    lemma_lex_total(b, c);
    if lex_lt(a, b) && lex_lt(b, c) {
        lemma_lex_transitive(a, b, c);
    }
    if lex_lt(a, c) && lex_lt(c, b) {
        lemma_lex_transitive(a, c, b);
    }
}

/// The place of a name: the names before it come before the name, and the
/// name at it does not.
pub proof fn lemma_rank(cs: Seq<(Seq<u8>, NodeView)>, name: Seq<u8>)
    ensures
        0 <= rank(cs, name) <= cs.len(),
        forall|j: int| 0 <= j < rank(cs, name) ==> lex_lt((#[trigger] cs[j]).0, name),
        rank(cs, name) < cs.len() ==> !lex_lt(cs[rank(cs, name)].0, name),
    decreases cs.len(),
{
    if cs.len() > 0 && lex_lt(cs[0].0, name) {
        let t = cs.drop_first();
        lemma_rank(t, name);
        assert forall|j: int| 0 <= j < rank(cs, name) implies lex_lt(
            (#[trigger] cs[j]).0,
            name,
        ) by {
            if j > 0 {
                assert(cs[j] == t[j - 1]);
            }
        }
    }
}

/// The place of a name is the first at which the name does not come after
/// the name of the child.
pub proof fn lemma_rank_is(cs: Seq<(Seq<u8>, NodeView)>, name: Seq<u8>, at: int)
    requires
        0 <= at <= cs.len(),
        forall|j: int| 0 <= j < at ==> lex_lt((#[trigger] cs[j]).0, name),
        at < cs.len() ==> !lex_lt(cs[at].0, name),
    ensures
        rank(cs, name) == at,
    decreases cs.len(),
{
    if at > 0 {
        let t = cs.drop_first();
        assert forall|j: int| 0 <= j < at - 1 implies lex_lt((#[trigger] t[j]).0, name) by {}
        lemma_rank_is(t, name, at - 1);
    }
}

/// Placing a child, by the first of the children.
pub proof fn lemma_put_unfold(cs: Seq<(Seq<u8>, NodeView)>, name: Seq<u8>, node: NodeView)
    ensures
        put(cs, name, node) == if cs.len() == 0 {
            seq![(name, node)]
        } else if lex_lt(cs[0].0, name) {
            seq![cs[0]] + put(cs.drop_first(), name, node)
        } else if cs[0].0 == name {
            seq![(name, node)] + cs.drop_first()
        } else {
            seq![(name, node)] + cs
        },
{
    if cs.len() > 0 && lex_lt(cs[0].0, name) {
        lemma_rank(cs.drop_first(), name);
    }
}

/// The child that was placed is found.
pub proof fn lemma_get_put_same(cs: Seq<(Seq<u8>, NodeView)>, name: Seq<u8>, node: NodeView)
    ensures
        get(put(cs, name, node), name) == Some(node),
{
    lemma_rank(cs, name);
    let at = rank(cs, name);
    let after = put(cs, name, node);
    lemma_lex_asymmetric(name, name);
    assert forall|j: int| 0 <= j < at implies lex_lt((#[trigger] after[j]).0, name) by {}
    lemma_rank_is(after, name, at);
}

/// Placing a child leaves the children of other names as they are found.
pub proof fn lemma_get_put_other(
    cs: Seq<(Seq<u8>, NodeView)>,
    name: Seq<u8>,
    node: NodeView,
    other: Seq<u8>,
)
    requires
        name != other,
    ensures
        get(put(cs, name, node), other) == get(cs, other),
    decreases cs.len(),
{
    lemma_put_unfold(cs, name, node);
    let after = put(cs, name, node);
    if cs.len() > 0 {
        let head = cs[0].0;
        let t = cs.drop_first();
        lemma_lex_order(head, name, other);
        if lex_lt(head, name) {
            assert(after.drop_first() =~= put(t, name, node));
            lemma_get_put_other(t, name, node, other);
        } else if head == name {
            assert(after.drop_first() =~= t);
        } else {
            assert(after.drop_first() =~= cs);
        }
    }
}

/// Of two children placed under one name the second stays.
pub proof fn lemma_put_put_same(
    cs: Seq<(Seq<u8>, NodeView)>,
    name: Seq<u8>,
    first: NodeView,
    second: NodeView,
)
    ensures
        put(put(cs, name, first), name, second) == put(cs, name, second),
{
    lemma_rank(cs, name);
    let at = rank(cs, name);
    let after = put(cs, name, first);
    lemma_lex_asymmetric(name, name);
    assert forall|j: int| 0 <= j < at implies lex_lt((#[trigger] after[j]).0, name) by {}
    lemma_rank_is(after, name, at);
}

/// Children of different names can be placed in either order.
pub proof fn lemma_put_commutes(
    cs: Seq<(Seq<u8>, NodeView)>,
    name1: Seq<u8>,
    node1: NodeView,
    name2: Seq<u8>,
    node2: NodeView,
)
    requires
        name1 != name2,
    ensures
        put(put(cs, name1, node1), name2, node2) == put(put(cs, name2, node2), name1, node1),
    decreases cs.len(),
{
    let a = put(cs, name1, node1);
    let b = put(cs, name2, node2);
    lemma_put_unfold(cs, name1, node1);
    lemma_put_unfold(cs, name2, node2);
    lemma_put_unfold(a, name2, node2);
    lemma_put_unfold(b, name1, node1);
    lemma_lex_order(name1, name2, name2);
    if cs.len() > 0 {
        let head = cs[0].0;
        let t = cs.drop_first();
        lemma_lex_order(head, name1, name2);
        if lex_lt(head, name1) {
            assert(a.drop_first() =~= put(t, name1, node1));
        } else if head == name1 {
            assert(a.drop_first() =~= t);
        } else {
            assert(a.drop_first() =~= cs);
        }
        if lex_lt(head, name2) {
            assert(b.drop_first() =~= put(t, name2, node2));
        } else if head == name2 {
            assert(b.drop_first() =~= t);
        } else {
            assert(b.drop_first() =~= cs);
        }
        if lex_lt(head, name1) && lex_lt(head, name2) {
            lemma_put_commutes(t, name1, node1, name2, node2);
        }
    }
}

/// Placing a child keeps the children in the order of their names.
pub proof fn lemma_put_ascending(cs: Seq<(Seq<u8>, NodeView)>, name: Seq<u8>, node: NodeView)
    requires
        ascending(names(cs)),
    ensures
        ascending(names(put(cs, name, node))),
{
    lemma_rank(cs, name);
    let at = rank(cs, name);
    let after = names(put(cs, name, node));
    let before = names(cs);
    if at < cs.len() && cs[at].0 == name {
        assert(after =~= before);
    } else {
        assert(after =~= before.insert(at, name));
        assert forall|i: int, j: int| 0 <= i < j < after.len() implies lex_lt(
            after[i],
            after[j],
        ) by {
            if i == at {
                // the name comes before every child from its place on
                lemma_lex_order(name, before[at], before[j - 1]);
            }
        }
    }
}

} // verus!
