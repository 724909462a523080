use vstd::prelude::*;
use vstd::set_lib::{lemma_int_range, lemma_len_subset, set_int_range};

use crate::html::node::element::anchor::anchor_open;
use crate::html::node::element::ElementInner;
use crate::html::node::{HTMLNode, NodeContent, NodeView};
use crate::html::{HTMLNodeInnerT, NodeError, NodeLinks};

verus! {

/// `s` with the occurrence of `v` taken out, if there is one.
pub open spec fn without(s: Seq<usize>, v: usize) -> Seq<usize> {
    if s.contains(v) {
        s.remove(s.index_of(v))
    } else {
        s
    }
}

/// The nodes after `c` has been moved under `np` (or made a root when `np` is
/// `None`): `c` leaves the children list that held it, is appended to the
/// children of its new parent, and its parent link is replaced.
pub open spec fn relink(nodes: Seq<NodeView>, c: int, np: Option<usize>) -> Seq<NodeView> {
    Seq::new(
        nodes.len(),
        |x: int|
            {
                let l = nodes[x].links;
                let kept = without(l.children, c as usize);
                NodeView {
                    links: NodeLinks {
                        parent: if x == c {
                            np
                        } else {
                            l.parent
                        },
                        children: if np == Some(x as usize) {
                            kept.push(c as usize)
                        } else {
                            kept
                        },
                        leaf: l.leaf,
                    },
                    content: nodes[x].content,
                }
            },
    )
}

/// Text records are leaves; anchors are containers.
pub open spec fn kind_fits(v: NodeView) -> bool {
    match v.content {
        NodeContent::Text { .. } => v.links.leaf,
        NodeContent::Anchor { .. } => !v.links.leaf,
        NodeContent::Bare => true,
    }
}

/// `nodes` with the links of node `i` replaced by `l`.
pub open spec fn set_links(nodes: Seq<NodeView>, i: int, l: NodeLinks) -> Seq<NodeView> {
    nodes.update(i, NodeView { links: l, ..nodes[i] })
}

/// A forest of nodes held in an arena; a node is named by its index.
pub struct HTMLTree {
    nodes: Vec<HTMLNode>,
    /// The number of parent hops from each node to its root.
    depth: Ghost<Seq<nat>>,
}

impl View for HTMLTree {
    type V = Seq<NodeView>;

    closed spec fn view(&self) -> Seq<NodeView> {
        self.nodes@.map_values(|n: HTMLNode| n@)
    }
}

impl HTMLTree {
    /// The depth of each node; it witnesses that parent links never cycle.
    pub closed spec fn depths(&self) -> Seq<nat> {
        self.depth@
    }

    pub open spec fn parent_of(&self, i: int) -> Option<usize> {
        self@[i].links.parent
    }

    pub open spec fn children_of(&self, i: int) -> Seq<usize> {
        self@[i].links.children
    }

    pub open spec fn is_leaf(&self, i: int) -> bool {
        self@[i].links.leaf
    }

    pub open spec fn valid(&self, i: int) -> bool {
        0 <= i < self@.len()
    }

    /// Every node that a children list holds links back to that parent, leaves
    /// have no children, no children list repeats a node, and each node lies
    /// one level below the node its parent link names. A parent link may
    /// outlive its entry: detaching takes a node out of its parent's children
    /// and leaves its parent link as it was.
    pub open spec fn links_wf(&self) -> bool {
        let n = self@.len();
        &&& n <= usize::MAX
        &&& self.depths().len() == n
        &&& forall|i: int| #![trigger self@[i]]
            0 <= i < n ==> {
                &&& kind_fits(self@[i])
                &&& (self.is_leaf(i) ==> self.children_of(i).len() == 0)
                &&& self.children_of(i).no_duplicates()
                &&& match self.parent_of(i) {
                    None => self.depths()[i] == 0,
                    Some(p) => {
                        &&& p < n
                        &&& self.depths()[i] == self.depths()[p as int] + 1
                    },
                }
            }
        &&& forall|i: int, k: int|
            0 <= i < n && 0 <= k < self.children_of(i).len() ==> {
                let c = #[trigger] self@[i].links.children[k];
                c < n && self.parent_of(c as int) == Some(i as usize)
            }
    }

    /// The tree's invariant.
    pub open spec fn wf(&self) -> bool {
        &&& self.links_wf()
        &&& forall|i: int| 0 <= i < self@.len() ==> #[trigger] self.depths()[i] < self@.len()
    }

    /// `a` lies on the parent chain of `b`, at least one hop above it.
    pub open spec fn is_ancestor(&self, a: int, b: int) -> bool
        decreases self.depths()[b],
        when self.links_wf() && 0 <= b < self@.len()
    {
        match self.parent_of(b) {
            None => false,
            Some(p) => p == a || self.is_ancestor(a, p as int),
        }
    }

    /// The outcome of asking whether `a` is an ancestor of `b`.
    pub open spec fn ancestor_query(&self, a: int, b: int) -> Result<bool, NodeError> {
        if a == b {
            Err(NodeError::SameNodeCompare)
        } else {
            Ok(self.is_ancestor(a, b))
        }
    }

    /// The markup of node `i` and everything below it.
    pub open spec fn markup(&self, i: int) -> Seq<char>
        decreases self@.len() - self.depths()[i], self.children_of(i).len() + 1,
        when self.wf() && 0 <= i < self@.len()
    {
        match self@[i].content {
            NodeContent::Bare => Seq::empty(),
            NodeContent::Text { content } => content,
            NodeContent::Anchor { href, attrs } => anchor_open(href, attrs)
                + self.children_markup(i, self.children_of(i).len() as int) + "</a>"@,
        }
    }

    /// The markup of the first `k` children of `i`, concatenated in order.
    pub open spec fn children_markup(&self, i: int, k: int) -> Seq<char>
        decreases self@.len() - self.depths()[i], k,
        when self.wf() && 0 <= i < self@.len() && 0 <= k <= self.children_of(i).len()
    {
        if k <= 0 {
            Seq::empty()
        } else {
            self.children_markup(i, k - 1) + self.markup(self.children_of(i)[k - 1] as int)
        }
    }

    /// An ancestor lies strictly higher than its descendant.
    pub proof fn lemma_ancestor_depth(&self, a: int, b: int)
        requires
            self.links_wf(),
            0 <= b < self@.len(),
            self.is_ancestor(a, b),
        ensures
            0 <= a < self@.len(),
            self.depths()[a] < self.depths()[b],
        decreases self.depths()[b],
    {
        assert(self@[b] == self@[b]);
        let p = self.parent_of(b)->0 as int;
        assert(self@[p] == self@[p]);
        if p != a {
            self.lemma_ancestor_depth(a, p);
        }
    }

    /// The nodes on the parent chain from `x` up to its root, `x` included.
    pub closed spec fn chain(&self, x: int) -> Set<int>
        decreases self.depths()[x],
        when self.links_wf() && 0 <= x < self@.len()
    {
        match self.parent_of(x) {
            None => set![x],
            Some(p) => self.chain(p as int).insert(x),
        }
    }

    proof fn lemma_chain(&self, x: int)
        requires
            self.links_wf(),
            0 <= x < self@.len(),
        ensures
            self.chain(x).finite(),
            self.chain(x).len() == self.depths()[x] + 1,
            self.chain(x).subset_of(set_int_range(0, self@.len() as int)),
            forall|y: int| #[trigger] self.chain(x).contains(y) ==> self.depths()[y] <= self.depths()[x],
        decreases self.depths()[x],
    {
        assert(self@[x] == self@[x]);
        match self.parent_of(x) {
            None => {
                assert(set![x].len() == 1) by {
                    assert(set![x] == Set::<int>::empty().insert(x));
                }
            },
            Some(p) => {
                assert(self@[p as int] == self@[p as int]);
                self.lemma_chain(p as int);
                assert(!self.chain(p as int).contains(x));
            },
        }
    }

    /// No node lies deeper than the number of nodes.
    pub proof fn lemma_depth_bound(&self)
        requires
            self.links_wf(),
        ensures
            self.wf(),
    {
        assert forall|i: int| 0 <= i < self@.len() implies #[trigger] self.depths()[i] < self@.len() by {
            self.lemma_chain(i);
            lemma_int_range(0, self@.len() as int);
            lemma_len_subset(self.chain(i), set_int_range(0, self@.len() as int));
        }
    }

    /// An empty tree.
    pub fn new() -> (r: Self)
        ensures
            r.wf(),
            r@ == Seq::<NodeView>::empty(),
    {
        let r = HTMLTree { nodes: Vec::new(), depth: Ghost(Seq::empty()) };
        assert(r@ =~= Seq::<NodeView>::empty());
        r
    }

    /// The number of nodes.
    pub fn len(&self) -> (r: usize)
        ensures
            r == self@.len(),
    {
        self.nodes.len()
    }

    /// The record of node `i`.
    pub fn node(&self, i: usize) -> (r: &HTMLNode)
        requires
            i < self@.len(),
        ensures
            r@ == self@[i as int],
    {
        &self.nodes[i]
    }

    /// The number of direct children of `i`.
    pub fn child_count(&self, i: usize) -> (r: usize)
        requires
            i < self@.len(),
        ensures
            r == self.children_of(i as int).len(),
    {
        self.nodes[i].as_html_node_inner().children().len()
    }

    /// Resolves the parent link of `i` to a node of the tree.
    fn parent_ptr(&self, i: usize) -> (r: Result<Option<usize>, NodeError>)
        requires
            i < self@.len(),
        ensures
            match r {
                Ok(p) => p == self.parent_of(i as int) && (p is Some ==> p->0 < self@.len()),
                Err(e) => {
                    &&& e == NodeError::GetParentPtr
                    &&& self.parent_of(i as int) is Some
                    &&& self.parent_of(i as int)->0 >= self@.len()
                },
            },
    {
        match self.nodes[i].as_html_node_inner().parent() {
            None => Ok(None),
            Some(p) => {
                if p < self.nodes.len() {
                    Ok(Some(p))
                } else {
                    Err(NodeError::GetParentPtr)
                }
            },
        }
    }

    /// Whether `a` is a proper ancestor of `b`; fails on `a == b`.
    pub fn is_ancestor_of(&self, a: usize, b: usize) -> (r: Result<bool, NodeError>)
        requires
            self.wf(),
            a < self@.len(),
            b < self@.len(),
        ensures
            r == self.ancestor_query(a as int, b as int),
    {
        if a == b {
            return Err(NodeError::SameNodeCompare);
        }
        let mut cur = b;
        loop
            invariant
                self.wf(),
                cur < self@.len(),
                a != b,
                self.is_ancestor(a as int, b as int) == self.is_ancestor(a as int, cur as int),
            decreases self.depths()[cur as int],
        {
            assert(self@[cur as int] == self@[cur as int]);
            match self.parent_ptr(cur) {
                Err(e) => {
                    return Err(e);
                },
                Ok(None) => {
                    return Ok(false);
                },
                Ok(Some(p)) => {
                    if p == a {
                        return Ok(true);
                    }
                    cur = p;
                },
            }
        }
    }

    /// Whether `a` lies below `b`; fails on `a == b`.
    pub fn is_descendant_of(&self, a: usize, b: usize) -> (r: Result<bool, NodeError>)
        requires
            self.wf(),
            a < self@.len(),
            b < self@.len(),
        ensures
            r == self.ancestor_query(b as int, a as int),
    {
        self.is_ancestor_of(b, a)
    }

    /// The outcome of attaching `c` under `p`.
    pub open spec fn add_child_result(&self, p: int, c: int) -> Result<(), NodeError> {
        if self.is_leaf(p) {
            Err(NodeError::AddToLeaf)
        } else if p == c {
            Err(NodeError::SameNodeCompare)
        } else if self.is_ancestor(c, p) {
            Err(NodeError::AddAncestorToDescendant)
        } else {
            Ok(())
        }
    }

    /// The outcome of detaching `c` from `p`.
    pub open spec fn remove_child_result(&self, p: int, c: int) -> Result<(), NodeError> {
        if self.children_of(p).contains(c as usize) {
            Ok(())
        } else {
            Err(NodeError::NotChild)
        }
    }

    /// `x` is `c` or lies below it.
    pub open spec fn in_subtree(&self, c: int, x: int) -> bool {
        x == c || self.is_ancestor(c, x)
    }

    /// The depths after the subtree of `c` is moved so that `c` lies at depth `base`.
    pub closed spec fn reroot_depths(&self, c: int, base: nat) -> Seq<nat> {
        Seq::new(
            self@.len(),
            |x: int|
                if self.in_subtree(c, x) {
                    (self.depths()[x] - self.depths()[c] + base) as nat
                } else {
                    self.depths()[x]
                },
        )
    }

    proof fn lemma_without(s: Seq<usize>, v: usize)
        requires
            s.no_duplicates(),
        ensures
            without(s, v).no_duplicates(),
            !without(s, v).contains(v),
            forall|y: usize| #[trigger] without(s, v).contains(y) <==> (s.contains(y) && y != v),
    {
        if s.contains(v) {
            let k = s.index_of(v);
            let r = s.remove(k);
            assert forall|y: usize| #[trigger] r.contains(y) <==> (s.contains(y) && y != v) by {
                if r.contains(y) {
                    let j = choose|j: int| 0 <= j < r.len() && r[j] == y;
                    if j < k {
                        assert(s[j] == y);
                    } else {
                        assert(s[j + 1] == y);
                    }
                }
                if s.contains(y) && y != v {
                    let j = choose|j: int| 0 <= j < s.len() && s[j] == y;
                    if j < k {
                        assert(r[j] == y);
                    } else {
                        assert(r[j - 1] == y);
                    }
                }
            }
        }
    }

    /// The conditions under which moving `c` under `np` yields `new`.
    pub closed spec fn relink_pre(old: &Self, new: &Self, c: int, np: Option<usize>) -> bool {
        &&& old.wf()
        &&& 0 <= c < old@.len()
        &&& new@ == relink(old@, c, np)
        &&& np matches Some(p) ==> {
            &&& p < old@.len()
            &&& !old.is_leaf(p as int)
            &&& !old.in_subtree(c, p as int)
        }
        &&& new.depths() == old.reroot_depths(
            c,
            match np {
                None => 0,
                Some(p) => old.depths()[p as int] + 1,
            },
        )
    }

    proof fn lemma_subtree_depth(old: &Self, c: int, x: int)
        requires
            old.wf(),
            0 <= c < old@.len(),
            0 <= x < old@.len(),
            old.in_subtree(c, x),
        ensures
            old.depths()[c] <= old.depths()[x],
    {
        if x != c {
            old.lemma_ancestor_depth(c, x);
        }
    }

    #[verifier::rlimit(40)]
    proof fn lemma_relink_node(old: &Self, new: &Self, c: int, np: Option<usize>, x: int)
        requires
            Self::relink_pre(old, new, c, np),
            0 <= x < old@.len(),
        ensures
            kind_fits(new@[x]),
            new.is_leaf(x) ==> new.children_of(x).len() == 0,
            new.children_of(x).no_duplicates(),
            match new.parent_of(x) {
                None => new.depths()[x] == 0,
                Some(p) => {
                    &&& p < new@.len()
                    &&& new.depths()[x] == new.depths()[p as int] + 1
                },
            },
    {
        let n = old@.len();
        let w = without(old.children_of(x), c as usize);
        assert(old@[x] == old@[x]);
        assert(new@[x].links.children == if np == Some(x as usize) {
            w.push(c as usize)
        } else {
            w
        });
        Self::lemma_without(old.children_of(x), c as usize);
        if np == Some(x as usize) {
            let wp = w.push(c as usize);
            assert forall|i: int, j: int| 0 <= i < j < wp.len() implies #[trigger] wp[i]
                != #[trigger] wp[j] by {
                if j == w.len() {
                    assert(w.contains(w[i]));
                }
            }
        }
        if x == c {
            Self::lemma_subtree_depth(old, c, x);
            match np {
                None => {},
                Some(p) => {
                    assert(old@[p as int] == old@[p as int]);
                },
            }
        } else {
            match old.parent_of(x) {
                None => {
                    assert(!old.is_ancestor(c, x));
                },
                Some(q) => {
                    assert(old@[q as int] == old@[q as int]);
                    assert(old.in_subtree(c, x) == old.in_subtree(c, q as int));
                    if old.in_subtree(c, x) {
                        Self::lemma_subtree_depth(old, c, x);
                        Self::lemma_subtree_depth(old, c, q as int);
                    }
                },
            }
        }
    }

    #[verifier::rlimit(40)]
    proof fn lemma_relink_child(old: &Self, new: &Self, c: int, np: Option<usize>, i: int, k: int)
        requires
            Self::relink_pre(old, new, c, np),
            0 <= i < old@.len(),
            0 <= k < new.children_of(i).len(),
        ensures
            ({
                let y = new@[i].links.children[k];
                y < new@.len() && new.parent_of(y as int) == Some(i as usize)
            }),
    {
        let y = new@[i].links.children[k];
        let w = without(old.children_of(i), c as usize);
        Self::lemma_without(old.children_of(i), c as usize);
        assert(old@[i] == old@[i]);
        assert(new@[i].links.children == if np == Some(i as usize) {
            w.push(c as usize)
        } else {
            w
        });
        if y != c as usize {
            assert(w[k] == y);
            assert(w.contains(y));
            let j = choose|j: int| 0 <= j < old.children_of(i).len() && old.children_of(i)[j] == y;
            assert(old@[i].links.children[j] == y);
            assert(new@[y as int].links.parent == old@[y as int].links.parent);
        } else if np != Some(i as usize) {
            assert(w[k] == y);
            assert(w.contains(y));
        }
    }

    /// Moving the subtree of `c` under `np` (or out to a root) keeps the
    /// tree well formed, provided the new parent is a container outside that
    /// subtree.
    proof fn lemma_relink_wf(old: &Self, new: &Self, c: int, np: Option<usize>)
        requires
            Self::relink_pre(old, new, c, np),
        ensures
            new.wf(),
    {
        let n = new@.len();
        assert(n == old@.len());
        assert forall|x: int| 0 <= x < n implies {
            &&& kind_fits(new@[x])
            &&& (new.is_leaf(x) ==> new.children_of(x).len() == 0)
            &&& new.children_of(x).no_duplicates()
            &&& match new.parent_of(x) {
                None => new.depths()[x] == 0,
                Some(p) => {
                    &&& p < n
                    &&& new.depths()[x] == new.depths()[p as int] + 1
                },
            }
        } by {
            Self::lemma_relink_node(old, new, c, np, x);
        }
        assert forall|i: int, k: int| 0 <= i < n && 0 <= k < new.children_of(i).len() implies {
            let y = #[trigger] new@[i].links.children[k];
            y < n && new.parent_of(y as int) == Some(i as usize)
        } by {
            Self::lemma_relink_child(old, new, c, np, i, k);
        }
        assert(new.links_wf());
        new.lemma_depth_bound();
    }

    /// The links as they stand once `c` has left the children list of its
    /// former parent.
    pub open spec fn detached(&self, c: int) -> Seq<NodeView> {
        match self.parent_of(c) {
            None => self@,
            Some(q) => set_links(
                self@,
                q as int,
                NodeLinks { children: without(self.children_of(q as int), c as usize), ..self@[q as int].links },
            ),
        }
    }

    /// Detaching `c`, relinking its parent to `np` and appending it to the
    /// children of `np` gives `relink`.
    proof fn lemma_relink_view(old: &Self, v1: Seq<NodeView>, now: Seq<NodeView>, c: int, np: Option<usize>)
        requires
            old.wf(),
            0 <= c < old@.len(),
            np matches Some(p) ==> p < old@.len(),
            v1 == old.detached(c),
            now == ({
                let v2 = set_links(v1, c, NodeLinks { parent: np, ..v1[c].links });
                match np {
                    None => v2,
                    Some(p) => set_links(
                        v2,
                        p as int,
                        NodeLinks { children: v2[p as int].links.children.push(c as usize), ..v2[p as int].links },
                    ),
                }
            }),
        ensures
            now == relink(old@, c, np),
    {
        let r = relink(old@, c, np);
        assert(old@[c] == old@[c]);
        assert forall|x: int| 0 <= x < old@.len() implies now[x] == r[x] by {
            assert(old@[x] == old@[x]);
            if old.parent_of(c) != Some(x as usize) {
                assert(!old.children_of(x).contains(c as usize)) by {
                    if old.children_of(x).contains(c as usize) {
                        let k = choose|k: int| 0 <= k < old.children_of(x).len() && old.children_of(x)[k] == c as usize;
                        assert(old@[x].links.children[k] == c as usize);
                    }
                }
            }
        }
        assert(now =~= r);
    }

    /// Takes `c` out of the children of `p`; the parent link of `c` is left
    /// as it is.
    fn remove_child_impl(&mut self, p: usize, c: usize) -> (r: Result<(), NodeError>)
        requires
            p < old(self)@.len(),
            old(self).children_of(p as int).no_duplicates(),
        ensures
            final(self).depths() == old(self).depths(),
            r == old(self).remove_child_result(p as int, c as int),
            r is Ok ==> final(self)@ == set_links(
                old(self)@,
                p as int,
                NodeLinks {
                    children: without(old(self).children_of(p as int), c),
                    ..old(self)@[p as int].links
                },
            ),
            r is Err ==> final(self)@ == old(self)@,
    {
        let n = self.nodes[p].as_html_node_inner().children().len();
        let mut idx: usize = 0;
        while idx < n && self.nodes[p].as_html_node_inner().children()[idx] != c
            invariant
                idx <= n,
                n == self.children_of(p as int).len(),
                p < self@.len(),
                forall|j: int| 0 <= j < idx ==> self.children_of(p as int)[j] != c,
            decreases n - idx,
        {
            idx += 1;
        }
        if idx < n {
            let ghost s = self.children_of(p as int);
            proof {
                assert(s.contains(c));
                let k = s.index_of(c);
                assert(s[k] == c);
                assert(k == idx);
            }
            let ghost before = self@;
            self.nodes[p].as_html_node_inner_mut().remove_child_at(idx);
            proof {
                assert(self@ =~= set_links(
                    before,
                    p as int,
                    NodeLinks { children: without(s, c), ..before[p as int].links },
                ));
            }
            Ok(())
        } else {
            Err(NodeError::NotChild)
        }
    }

    /// Appends `c` to the children of `p`, taking it out of the children of
    /// the node its parent link names, if that node still holds it.
    pub fn add_child(&mut self, p: usize, c: usize) -> (r: Result<(), NodeError>)
        requires
            old(self).wf(),
            p < old(self)@.len(),
            c < old(self)@.len(),
        ensures
            final(self).wf(),
            r == old(self).add_child_result(p as int, c as int),
            r is Ok ==> final(self)@ == relink(old(self)@, c as int, Some(p)),
            r is Err ==> final(self)@ == old(self)@,
    {
        if self.nodes[p].as_html_node_inner().is_leaf() {
            return Err(NodeError::AddToLeaf);
        }
        match self.is_descendant_of(p, c) {
            Err(e) => {
                return Err(e);
            },
            Ok(true) => {
                return Err(NodeError::AddAncestorToDescendant);
            },
            Ok(false) => {},
        }
        let ghost old_tree = *self;
        proof {
            assert(old_tree@[c as int] == old_tree@[c as int]);
        }
        match self.parent_ptr(c) {
            Err(e) => {
                return Err(e);
            },
            Ok(Some(q)) => {
                proof {
                    assert(old_tree@[q as int] == old_tree@[q as int]);
                }
                let _ = self.remove_child_impl(q, c);
                proof {
                    assert(self@ =~= old_tree.detached(c as int));
                }
            },
            Ok(None) => {},
        }
        let ghost v1 = self@;
        proof {
            assert(v1 == old_tree.detached(c as int));
            assert(self.nodes@.len() == v1.len());
        }
        self.nodes[c].as_html_node_inner_mut().set_parent(Some(p));
        proof {
            assert(self@ =~= set_links(v1, c as int, NodeLinks { parent: Some(p), ..v1[c as int].links }));
        }
        let ghost v2 = self@;
        self.nodes[p].as_html_node_inner_mut().push_child(c);
        proof {
            assert(self@ =~= set_links(
                v2,
                p as int,
                NodeLinks { children: v2[p as int].links.children.push(c), ..v2[p as int].links },
            ));
            Self::lemma_relink_view(&old_tree, v1, self@, c as int, Some(p));
        }
        self.depth = Ghost(old_tree.reroot_depths(c as int, old_tree.depths()[p as int] + 1));
        proof {
            Self::lemma_relink_wf(&old_tree, self, c as int, Some(p));
        }
        Ok(())
    }

    /// Takes `c` out of the children of `p`. The parent link of `c` and every
    /// other node stay as they were.
    pub fn remove_child(&mut self, p: usize, c: usize) -> (r: Result<(), NodeError>)
        requires
            old(self).wf(),
            p < old(self)@.len(),
            c < old(self)@.len(),
        ensures
            final(self).wf(),
            r == old(self).remove_child_result(p as int, c as int),
            r is Ok ==> final(self)@ == set_links(
                old(self)@,
                p as int,
                NodeLinks {
                    children: without(old(self).children_of(p as int), c),
                    ..old(self)@[p as int].links
                },
            ),
            r is Err ==> final(self)@ == old(self)@,
    {
        let ghost old_tree = *self;
        proof {
            assert(old_tree@[p as int] == old_tree@[p as int]);
        }
        let r = self.remove_child_impl(p, c);
        proof {
            if r is Ok {
                Self::lemma_detach_wf(&old_tree, self, p as int, c);
            }
        }
        r
    }

    /// Taking a node out of a children list keeps the tree well formed.
    proof fn lemma_detach_wf(old: &Self, new: &Self, p: int, c: usize)
        requires
            old.wf(),
            0 <= p < old@.len(),
            new.depths() == old.depths(),
            new@ == set_links(
                old@,
                p,
                NodeLinks { children: without(old.children_of(p), c), ..old@[p].links },
            ),
        ensures
            new.wf(),
    {
        let n = old@.len();
        let w = without(old.children_of(p), c);
        Self::lemma_without(old.children_of(p), c);
        assert(old@[p] == old@[p]);
        assert forall|x: int| 0 <= x < n implies {
            &&& kind_fits(new@[x])
            &&& (new.is_leaf(x) ==> new.children_of(x).len() == 0)
            &&& new.children_of(x).no_duplicates()
            &&& match new.parent_of(x) {
                None => new.depths()[x] == 0,
                Some(q) => {
                    &&& q < n
                    &&& new.depths()[x] == new.depths()[q as int] + 1
                },
            }
        } by {
            assert(old@[x] == old@[x]);
            if x == p && old.is_leaf(p) {
                assert(!old.children_of(p).contains(c));
            }
        }
        assert forall|i: int, k: int| 0 <= i < n && 0 <= k < new.children_of(i).len() implies {
            let y = #[trigger] new@[i].links.children[k];
            y < n && new.parent_of(y as int) == Some(i as usize)
        } by {
            assert(old@[i] == old@[i]);
            if i == p {
                let y = w[k];
                assert(w.contains(y));
                let j = choose|j: int| 0 <= j < old.children_of(p).len() && old.children_of(p)[j] == y;
                assert(old@[p].links.children[j] == y);
            } else {
                assert(new@[i].links.children[k] == old@[i].links.children[k]);
            }
        }
        assert forall|i: int| 0 <= i < n implies #[trigger] new.depths()[i] < new@.len() by {
            assert(old.depths()[i] < old@.len());
        }
    }

    /// Adds a detached node to the tree and returns its index.
    pub fn push_node(&mut self, node: HTMLNode) -> (r: usize)
        requires
            old(self).wf(),
            old(self)@.len() < usize::MAX,
            node@.links.parent is None,
            node@.links.children.len() == 0,
            kind_fits(node@),
        ensures
            final(self).wf(),
            r == old(self)@.len(),
            final(self)@ == old(self)@.push(node@),
    {
        let ghost old_tree = *self;
        let r = self.nodes.len();
        self.nodes.push(node);
        self.depth = Ghost(old_tree.depths().push(0));
        proof {
            assert(self@ =~= old_tree@.push(node@));
            assert forall|i: int| 0 <= i < r implies #[trigger] self@[i] == old_tree@[i] by {}
            assert(self@[r as int] == node@);
            assert forall|i: int, k: int| 0 <= i < self@.len() && 0 <= k < self.children_of(i).len() implies {
                let y = #[trigger] self@[i].links.children[k];
                y < self@.len() && self.parent_of(y as int) == Some(i as usize)
            } by {
                assert(old_tree@[i] == old_tree@[i]);
                assert(old_tree@[i].links.children[k] == self@[i].links.children[k]);
            }
            assert forall|i: int| 0 <= i < self@.len() implies #[trigger] self.depths()[i] < self@.len() by {
                if i < r {
                    assert(old_tree@[i] == old_tree@[i]);
                }
            }
        }
        r
    }

    /// The markup of node `i`: text verbatim; an anchor's opening tag, its
    /// children's markup in order, and `</a>`; nothing for a bare record.
    pub fn render(&self, i: usize) -> (r: String)
        requires
            self.wf(),
            i < self@.len(),
        ensures
            r@ == self.markup(i as int),
        decreases self@.len() - self.depths()[i as int],
    {
        proof {
            assert(self@[i as int] == self@[i as int]);
        }
        match &self.nodes[i] {
            HTMLNode::Text(t) => t.content.clone(),
            HTMLNode::Base(_) => String::new(),
            HTMLNode::Element(ElementInner::Anchor(a)) => {
                let mut res = a.render_open_tag();
                let ghost open = res@;
                let children = a.html_node_base.children();
                let n = children.len();
                let mut k: usize = 0;
                while k < n
                    invariant
                        self.wf(),
                        i < self@.len(),
                        children@ == self.children_of(i as int),
                        n == children@.len(),
                        k <= n,
                        res@ == open + self.children_markup(i as int, k as int),
                    decreases n - k,
                {
                    let c = children[k];
                    proof {
                        assert(self@[i as int].links.children[k as int] == c);
                        assert(self@[c as int] == self@[c as int]);
                    }
                    let s = self.render(c);
                    res.append(s.as_str());
                    k += 1;
                }
                res.append("</a>");
                res
            },
        }
    }
}

} // verus!
