use vstd::prelude::*;

pub mod node;
pub mod laws;
pub mod tree;

verus! {

/// Failures of the tree mutation protocol and of relationship queries.
#[derive(Debug, Clone, Copy, PartialEq, Eq, Structural)]
pub enum NodeError {
    /// A parent reference did not resolve to a node of the tree.
    GetParentPtr,
    /// The node to detach is not a child of the given parent.
    NotChild,
    /// Both operands of a relationship query are the same node.
    SameNodeCompare,
    /// Attaching would place a node under one of its own descendants.
    AddAncestorToDescendant,
    /// Leaf nodes never hold children.
    AddToLeaf,
}

impl NodeError {
    /// Human-readable description of the error.
    pub fn message(&self) -> (r: &'static str)
        ensures
            r@ == self.message_spec(),
    {
        match self {
            NodeError::GetParentPtr => "failed to get parent pointer",
            NodeError::NotChild => "node is not child",
            NodeError::SameNodeCompare => "same node comparision",
            NodeError::AddAncestorToDescendant => "cannot add ancestor to descendant node",
            NodeError::AddToLeaf => "cannot add to leaf node",
        }
    }

    pub open spec fn message_spec(&self) -> Seq<char> {
        match self {
            NodeError::GetParentPtr => "failed to get parent pointer"@,
            NodeError::NotChild => "node is not child"@,
            NodeError::SameNodeCompare => "same node comparision"@,
            NodeError::AddAncestorToDescendant => "cannot add ancestor to descendant node"@,
            NodeError::AddToLeaf => "cannot add to leaf node"@,
        }
    }
}

/// What the tree knows of a node's links: its parent, its children in order,
/// and whether it is a leaf.
pub ghost struct NodeLinks {
    pub parent: Option<usize>,
    pub children: Seq<usize>,
    pub leaf: bool,
}

/// A node record: it carries a link record.
pub trait HTMLNodeInnerT {
    /// The links of the record.
    spec fn links(&self) -> NodeLinks;

    fn as_html_node_inner(&self) -> (r: &HTMLNodeBaseInner)
        ensures
            r@ == self.links(),
    ;
}

/// The link record every node carries.
pub struct HTMLNodeBaseInner {
    parent: Option<usize>,
    children: Vec<usize>,
    leaf: bool,
}

impl View for HTMLNodeBaseInner {
    type V = NodeLinks;

    closed spec fn view(&self) -> NodeLinks {
        NodeLinks { parent: self.parent, children: self.children@, leaf: self.leaf }
    }
}

impl HTMLNodeBaseInner {
    /// A detached record: no parent, no children.
    pub fn new(leaf: bool) -> (r: Self)
        ensures
            r@ == (NodeLinks { parent: None, children: Seq::empty(), leaf }),
    {
        HTMLNodeBaseInner { parent: None, children: Vec::new(), leaf }
    }

    pub fn parent(&self) -> (r: Option<usize>)
        ensures
            r == self@.parent,
    {
        self.parent
    }

    pub fn children(&self) -> (r: &Vec<usize>)
        ensures
            r@ == self@.children,
    {
        &self.children
    }

    pub fn is_leaf(&self) -> (r: bool)
        ensures
            r == self@.leaf,
    {
        self.leaf
    }

    pub(crate) fn set_parent(&mut self, parent: Option<usize>)
        ensures
            final(self)@ == (NodeLinks { parent, ..old(self)@ }),
    {
        self.parent = parent;
    }

    pub(crate) fn push_child(&mut self, child: usize)
        ensures
            final(self)@ == (NodeLinks { children: old(self)@.children.push(child), ..old(self)@ }),
    {
        self.children.push(child);
    }

    pub(crate) fn remove_child_at(&mut self, idx: usize)
        requires
            idx < old(self)@.children.len(),
        ensures
            final(self)@ == (NodeLinks {
                children: old(self)@.children.remove(idx as int),
                ..old(self)@
            }),
    {
        let _ = self.children.remove(idx);
    }
}

impl HTMLNodeInnerT for HTMLNodeBaseInner {
    open spec fn links(&self) -> NodeLinks {
        self@
    }

    fn as_html_node_inner(&self) -> (r: &HTMLNodeBaseInner) {
        self
    }
}

impl Default for HTMLNodeBaseInner {
    fn default() -> (r: Self)
        ensures
            r@ == (NodeLinks { parent: None, children: Seq::empty(), leaf: false }),
    {
        HTMLNodeBaseInner::new(false)
    }
}

} // verus!
