use vstd::prelude::*;

use crate::html::node::element::anchor::{AnchorBuilder, AnchorConfig};
use crate::html::node::element::attribute::{keys_sorted, lemma_attr_markup_by_mapping, lookup};
use crate::html::tree::{relink, without, HTMLTree};
use crate::html::NodeError;

verus! {

/// A node is neither its own ancestor nor its own descendant: asking either
/// fails with `SameNodeCompare`.
pub proof fn lemma_self_query(t: &HTMLTree, n: int)
    requires
        t.wf(),
        t.valid(n),
    ensures
        t.ancestor_query(n, n) == Err::<bool, NodeError>(NodeError::SameNodeCompare),
{
}

/// Attaching anything under a leaf fails with `AddToLeaf`.
pub proof fn lemma_add_to_leaf(t: &HTMLTree, p: int, c: int)
    requires
        t.wf(),
        t.valid(p),
        t.valid(c),
        t.is_leaf(p),
    ensures
        t.add_child_result(p, c) == Err::<(), NodeError>(NodeError::AddToLeaf),
{
}

/// Attaching a container `b` above its own ancestor `a` fails with
/// `AddAncestorToDescendant`.
pub proof fn lemma_add_ancestor_to_descendant(t: &HTMLTree, a: int, b: int)
    requires
        t.wf(),
        t.valid(a),
        t.valid(b),
        t.is_ancestor(a, b),
        !t.is_leaf(b),
    ensures
        t.add_child_result(b, a) == Err::<(), NodeError>(NodeError::AddAncestorToDescendant),
{
    t.lemma_ancestor_depth(a, b);
}

/// Once `c` is attached under `p`, where it was not a child before, `p` has
/// one child more and is an ancestor of `c`.
pub proof fn lemma_add_child_attaches(t: &HTMLTree, u: &HTMLTree, p: int, c: int)
    requires
        t.wf(),
        u.wf(),
        t.valid(p),
        t.valid(c),
        t.add_child_result(p, c) is Ok,
        u@ == relink(t@, c, Some(p as usize)),
        !t.children_of(p).contains(c as usize),
    ensures
        u.children_of(p).len() == t.children_of(p).len() + 1,
        u.ancestor_query(p, c) == Ok::<bool, NodeError>(true),
{
    assert(t@[p] == t@[p]);
    assert(u@[c] == u@[c]);
}

/// Above a node outside the subtree of `c`, moving that subtree changes
/// nothing.
pub proof fn lemma_relink_outside(t: &HTMLTree, u: &HTMLTree, c: int, np: Option<usize>, a: int, x: int)
    requires
        t.wf(),
        u.wf(),
        t.valid(c),
        t.valid(x),
        u@ == relink(t@, c, np),
        !t.in_subtree(c, x),
    ensures
        u.is_ancestor(a, x) == t.is_ancestor(a, x),
    decreases t.depths()[x],
{
    assert(t@[x] == t@[x]);
    assert(u@[x] == u@[x]);
    match t.parent_of(x) {
        None => {},
        Some(q) => {
            assert(t@[q as int] == t@[q as int]);
            lemma_relink_outside(t, u, c, np, a, q as int);
        },
    }
}

/// Moving `c` from `p1` to `p2`, where `p1` is not an ancestor of `p2`: `p1`
/// loses a child and is no longer an ancestor of `c`; `p2` is.
pub proof fn lemma_reparent(
    t0: &HTMLTree,
    t1: &HTMLTree,
    t2: &HTMLTree,
    p1: int,
    p2: int,
    c: int,
)
    requires
        t0.wf(),
        t1.wf(),
        t2.wf(),
        t0.valid(p1),
        t0.valid(p2),
        t0.valid(c),
        t0.add_child_result(p1, c) is Ok,
        t1@ == relink(t0@, c, Some(p1 as usize)),
        t1.add_child_result(p2, c) is Ok,
        t2@ == relink(t1@, c, Some(p2 as usize)),
        p1 != p2,
        !t1.is_ancestor(p1, p2),
    ensures
        t2.children_of(p1).len() + 1 == t1.children_of(p1).len(),
        t2.ancestor_query(p1, c) == Ok::<bool, NodeError>(false),
        t2.ancestor_query(p2, c) == Ok::<bool, NodeError>(true),
{
    assert(t1@[c] == t1@[c]);
    assert(t2@[c] == t2@[c]);
    assert(t1@[p1] == t1@[p1]);
    assert(t2@[p1] == t2@[p1]);
    let w = without(t0.children_of(p1), c as usize);
    assert(t1.children_of(p1) == w.push(c as usize));
    assert(t1.children_of(p1)[w.len() as int] == c as usize);
    assert(t1.children_of(p1).contains(c as usize));
    assert(t2.children_of(p1) == without(t1.children_of(p1), c as usize));
    lemma_relink_outside(t1, t2, c, Some(p2 as usize), p1, p2);
}

/// Detaching a node that is not a child fails with `NotChild`.
pub proof fn lemma_remove_non_child(t: &HTMLTree, p: int, c: int)
    requires
        t.wf(),
        t.valid(p),
        !t.children_of(p).contains(c as usize),
    ensures
        t.remove_child_result(p, c) == Err::<(), NodeError>(NodeError::NotChild),
{
}

/// Nodes appended after node `i` leave its markup as it was.
pub proof fn lemma_markup_prefix(t: &HTMLTree, u: &HTMLTree, i: int)
    requires
        t.wf(),
        u.wf(),
        t.valid(i),
        t@.len() <= u@.len(),
        u@.subrange(0, t@.len() as int) == t@,
    ensures
        u.markup(i) == t.markup(i),
    decreases t@.len() - t.depths()[i], t.children_of(i).len() + 1,
{
    assert(t@[i] == t@[i]);
    assert(u@[i] == u@.subrange(0, t@.len() as int)[i]);
    lemma_children_markup_prefix(t, u, i, t.children_of(i).len() as int);
}

proof fn lemma_children_markup_prefix(t: &HTMLTree, u: &HTMLTree, i: int, k: int)
    requires
        t.wf(),
        u.wf(),
        t.valid(i),
        0 <= k <= t.children_of(i).len(),
        t@.len() <= u@.len(),
        u@.subrange(0, t@.len() as int) == t@,
    ensures
        u.children_markup(i, k) == t.children_markup(i, k),
    decreases t@.len() - t.depths()[i], k,
{
    assert(t@[i] == t@[i]);
    assert(u@[i] == u@.subrange(0, t@.len() as int)[i]);
    if k > 0 {
        lemma_children_markup_prefix(t, u, i, k - 1);
        let c = t.children_of(i)[k - 1];
        assert(t@[i].links.children[k - 1] == c);
        assert(t@[c as int] == t@[c as int]);
        lemma_markup_prefix(t, u, c as int);
    }
}

/// Building the same configuration twice gives two anchors with the same
/// markup: the second build leaves the first anchor's markup as it was, and
/// data attributes count as a mapping, whatever order their keys were set in.
pub proof fn lemma_build_twice(
    t0: &HTMLTree,
    t1: &HTMLTree,
    t2: &HTMLTree,
    cfg1: AnchorConfig,
    cfg2: AnchorConfig,
)
    requires
        t0.wf(),
        t1.wf(),
        t2.wf(),
        t1@ == t0@ + AnchorBuilder::built_nodes(t0@.len() as int, cfg1),
        t1.markup(t0@.len() as int) == AnchorBuilder::built_markup(cfg1),
        t2@ == t1@ + AnchorBuilder::built_nodes(t1@.len() as int, cfg2),
        t2.markup(t1@.len() as int) == AnchorBuilder::built_markup(cfg2),
        cfg1.href == cfg2.href,
        cfg1.content == cfg2.content,
        cfg1.attrs.class == cfg2.attrs.class,
        cfg1.attrs.id == cfg2.attrs.id,
        keys_sorted(cfg1.attrs.data),
        keys_sorted(cfg2.attrs.data),
        forall|k: Seq<char>| #[trigger] lookup(cfg1.attrs.data, k) == lookup(cfg2.attrs.data, k),
    ensures
        t2.markup(t0@.len() as int) == t2.markup(t1@.len() as int),
{
    assert(t2@.subrange(0, t1@.len() as int) =~= t1@);
    lemma_markup_prefix(t1, t2, t0@.len() as int);
    lemma_attr_markup_by_mapping(cfg1.attrs, cfg2.attrs);
}

} // verus!
