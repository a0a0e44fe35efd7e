//! What holds of every module tree: pushing keeps its order, finds its file
//! again, and does not depend on the order of the files; compiling declares
//! the children of each node in the order of their names.

use crate::children::{
    lemma_get_put_other, lemma_get_put_same, lemma_put_ascending, lemma_put_commutes,
    lemma_put_put_same, lemma_rank,
};
use crate::namespace::{
    ascending, distinct_ways, get, names, put, rank, root_name, significant, NodeView, StepView,
};
use crate::path::join;
use vstd::prelude::*;

verus! {

/// A child that is found among the children of a well-formed node is
/// well-formed.
pub proof fn lemma_get_wf(node: NodeView, name: Seq<u8>)
    requires
        node.wf(),
    ensures
        get(node.children, name) matches Some(child) ==> child.wf(),
{
}

/// Pushing a file into a well-formed tree gives a well-formed tree.
pub proof fn lemma_pushed_wf(node: NodeView, file: Seq<u8>, package: Seq<Seq<u8>>)
    requires
        node.wf(),
    ensures
        node.pushed(file, package).wf(),
    decreases package.len(),
{
    if package.len() == 0 {
        let after = node.pushed(file, package);
        assert forall|i: int| 0 <= i < after.children.len() implies (
        #[trigger] after.children[i]).1.wf() by {}
    } else if package.last() == root_name() {
        lemma_pushed_wf(node, file, package.drop_last());
    } else {
        let name = package.last();
        let child = match get(node.children, name) {
            Some(child) => child,
            None => NodeView::empty(),
        };
        lemma_pushed_wf(child, file, package.drop_last());
        let placed = child.pushed(file, package.drop_last());
        let after = put(node.children, name, placed);
        lemma_put_ascending(node.children, name, placed);
        lemma_rank(node.children, name);
        let at = rank(node.children, name);
        assert forall|i: int| 0 <= i < after.len() implies (#[trigger] after[i]).1.wf() by {}
    }
}

/// A file that was pushed stands at the end of its way.
pub proof fn lemma_file_at_pushed(node: NodeView, file: Seq<u8>, package: Seq<Seq<u8>>)
    ensures
        node.pushed(file, package).file_at(package) == Some(file),
    decreases package.len(),
{
    if package.len() == 0 {
        // the file is the file of the node itself
    } else if package.last() == root_name() {
        lemma_file_at_pushed(node, file, package.drop_last());
    } else {
        let name = package.last();
        let child = match get(node.children, name) {
            Some(child) => child,
            None => NodeView::empty(),
        };
        lemma_file_at_pushed(child, file, package.drop_last());
        lemma_get_put_same(node.children, name, child.pushed(file, package.drop_last()));
    }
}

/// The tree does not depend on the order in which two files are pushed,
/// unless both have the same way: then the one pushed last stays.
pub proof fn lemma_push_commutes(
    node: NodeView,
    file1: Seq<u8>,
    package1: Seq<Seq<u8>>,
    file2: Seq<u8>,
    package2: Seq<Seq<u8>>,
)
    requires
        significant(package1) != significant(package2),
    ensures
        node.pushed(file1, package1).pushed(file2, package2) == node.pushed(
            file2,
            package2,
        ).pushed(file1, package1),
    decreases package1.len() + package2.len(),
{
    if package1.len() > 0 && package1.last() == root_name() {
        lemma_push_commutes(node, file1, package1.drop_last(), file2, package2);
    } else if package2.len() > 0 && package2.last() == root_name() {
        lemma_push_commutes(node, file1, package1, file2, package2.drop_last());
    } else if package1.len() == 0 || package2.len() == 0 {
        if package1.len() == 0 && package2.len() == 0 {
            assert(package1 =~= package2);
        }
    } else {
        let name1 = package1.last();
        let name2 = package2.last();
        let rest1 = package1.drop_last();
        let rest2 = package2.drop_last();
        let cs = node.children;
        let child1 = match get(cs, name1) {
            Some(child) => child,
            None => NodeView::empty(),
        };
        let child2 = match get(cs, name2) {
            Some(child) => child,
            None => NodeView::empty(),
        };
        let placed1 = child1.pushed(file1, rest1);
        let placed2 = child2.pushed(file2, rest2);
        if name1 != name2 {
            lemma_get_put_other(cs, name1, placed1, name2);
            lemma_get_put_other(cs, name2, placed2, name1);
            lemma_put_commutes(cs, name1, placed1, name2, placed2);
        } else {
            lemma_get_put_same(cs, name1, placed1);
            lemma_get_put_same(cs, name2, placed2);
            lemma_put_put_same(cs, name1, placed1, placed1.pushed(file2, rest2));
            lemma_put_put_same(cs, name1, placed2, placed2.pushed(file1, rest1));
            lemma_push_commutes(child1, file1, rest1, file2, rest2);
        }
    }
}

/// Of two files with the same way the one pushed last stays, as if the
/// other had never been pushed.
pub proof fn lemma_push_replaces(
    node: NodeView,
    file1: Seq<u8>,
    package1: Seq<Seq<u8>>,
    file2: Seq<u8>,
    package2: Seq<Seq<u8>>,
)
    requires
        significant(package1) == significant(package2),
    ensures
        node.pushed(file1, package1).pushed(file2, package2) == node.pushed(file2, package2),
    decreases package1.len() + package2.len(),
{
    if package1.len() > 0 && package1.last() == root_name() {
        lemma_push_replaces(node, file1, package1.drop_last(), file2, package2);
    } else if package2.len() > 0 && package2.last() == root_name() {
        lemma_push_replaces(node, file1, package1, file2, package2.drop_last());
    } else if package1.len() > 0 && package2.len() > 0 {
        let name = package1.last();
        let rest1 = package1.drop_last();
        let rest2 = package2.drop_last();
        assert(significant(package1).last() == name);
        assert(significant(package1).drop_last() =~= significant(rest1));
        assert(significant(package2).drop_last() =~= significant(rest2));
        let cs = node.children;
        let child = match get(cs, name) {
            Some(child) => child,
            None => NodeView::empty(),
        };
        let placed = child.pushed(file1, rest1);
        lemma_get_put_same(cs, name, placed);
        lemma_put_put_same(cs, name, placed, placed.pushed(file2, rest2));
        lemma_push_replaces(child, file1, rest1, file2, rest2);
    }
}

/// Pushing some files into a well-formed tree gives a well-formed tree.
pub proof fn lemma_pushed_all_wf(node: NodeView, files: Seq<(Seq<u8>, Seq<Seq<u8>>)>)
    requires
        node.wf(),
    ensures
        node.pushed_all(files).wf(),
    decreases files.len(),
{
    if files.len() > 0 {
        lemma_pushed_wf(node, files[0].0, files[0].1);
        lemma_pushed_all_wf(node.pushed(files[0].0, files[0].1), files.drop_first());
    }
}

/// A file among those pushed can as well be pushed first.
proof fn lemma_pushed_first(node: NodeView, files: Seq<(Seq<u8>, Seq<Seq<u8>>)>, k: int)
    requires
        0 <= k < files.len(),
        distinct_ways(files),
    ensures
        node.pushed_all(files) == node.pushed(files[k].0, files[k].1).pushed_all(files.remove(k)),
    decreases k,
{
    let rest = files.drop_first();
    if k > 0 {
        let first = files[0];
        let moved = files[k];
        assert forall|i: int, j: int| 0 <= i < j < rest.len() implies significant(rest[i].1)
            != significant(rest[j].1) by {}
        lemma_pushed_first(node.pushed(first.0, first.1), rest, k - 1);
        lemma_push_commutes(node, first.0, first.1, moved.0, moved.1);
        let others = files.remove(k);
        assert(others.drop_first() =~= rest.remove(k - 1));
    }
}

/// The tree does not depend on the order in which files are pushed, as long
/// as no two of them have the same way.
pub proof fn lemma_order_independent(
    node: NodeView,
    files: Seq<(Seq<u8>, Seq<Seq<u8>>)>,
    others: Seq<(Seq<u8>, Seq<Seq<u8>>)>,
)
    requires
        files.to_multiset() == others.to_multiset(),
        distinct_ways(files),
    ensures
        node.pushed_all(files) == node.pushed_all(others),
    decreases files.len(),
{
    files.to_multiset_ensures();
    others.to_multiset_ensures();
    if others.len() > 0 {
        let moved = others[0];
        assert(files.to_multiset().count(moved) > 0);
        let k = choose|k: int| 0 <= k < files.len() && files[k] == moved;
        lemma_pushed_first(node, files, k);
        let left = files.remove(k);
        let right = others.drop_first();
        assert(right =~= others.remove(0));
        assert forall|i: int, j: int| 0 <= i < j < left.len() implies significant(left[i].1)
            != significant(left[j].1) by {}
        lemma_order_independent(node.pushed(moved.0, moved.1), left, right);
    }
}

/// Tells whether a step that writes a module file declares the children in
/// the order of their names.
pub open spec fn declares_in_order(step: StepView) -> bool {
    match step {
        StepView::WriteModule { children, .. } => ascending(children),
        StepView::MakeDir(_) => true,
    }
}

/// Every module file of a well-formed tree declares the children in the
/// order of their names.
pub proof fn lemma_compiled_in_order(node: NodeView, dst: Seq<u8>)
    requires
        node.wf(),
    ensures
        forall|k: int|
            0 <= k < node.compiled(dst).len() ==> declares_in_order(
                #[trigger] node.compiled(dst)[k],
            ),
    decreases node, node.children.len() + 1,
{
    lemma_compiled_children_in_order(node, dst, node.children.len());
    let all = node.compiled(dst);
    let inner = node.compiled_children(dst, node.children.len());
    assert forall|k: int| 0 <= k < all.len() implies declares_in_order(#[trigger] all[k]) by {
        if 1 <= k <= inner.len() {
            assert(all[k] == inner[k - 1]);
        }
    }
}

/// The same of the module files of the first `n` children.
proof fn lemma_compiled_children_in_order(node: NodeView, dst: Seq<u8>, n: nat)
    requires
        node.wf(),
    ensures
        forall|k: int|
            0 <= k < node.compiled_children(dst, n).len() ==> declares_in_order(
                #[trigger] node.compiled_children(dst, n)[k],
            ),
    decreases node, n,
{
    if 0 < n <= node.children.len() {
        lemma_compiled_children_in_order(node, dst, (n - 1) as nat);
        lemma_compiled_in_order(node.children[n - 1].1, join(dst, node.children[n - 1].0));
        let all = node.compiled_children(dst, n);
        let before = node.compiled_children(dst, (n - 1) as nat);
        let last = node.children[n - 1].1.compiled(join(dst, node.children[n - 1].0));
        assert forall|k: int| 0 <= k < all.len() implies declares_in_order(#[trigger] all[k]) by {
            if k < before.len() {
                assert(all[k] == before[k]);
            } else {
                assert(all[k] == last[k - before.len()]);
            }
        }
    }
}

} // verus!
