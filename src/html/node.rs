pub mod element;
pub mod text;

use vstd::prelude::*;

use crate::html::node::element::anchor::{AnchorElementInner, AttrView};
use crate::html::node::element::anchor::{create_anchor_impl, AnchorBuilder, AnchorConfig};
use crate::html::node::element::ElementInner;
use crate::html::node::text::{create_text_impl, text_view, TextInner};
use crate::html::tree::HTMLTree;
use crate::html::{HTMLNodeBaseInner, HTMLNodeInnerT, NodeLinks};

verus! {

/// What a node holds besides its links.
pub ghost enum NodeContent {
    /// A bare record that renders nothing.
    Bare,
    Text { content: Seq<char> },
    Anchor { href: Option<Seq<char>>, attrs: AttrView },
}

/// A node as the tree sees it: its links and its content.
pub ghost struct NodeView {
    pub links: NodeLinks,
    pub content: NodeContent,
}

/// A node record of the tree.
pub enum HTMLNode {
    Text(TextInner),
    Element(ElementInner),
    /// A record with links only; it renders as the empty string.
    Base(HTMLNodeBaseInner),
}

impl View for HTMLNode {
    type V = NodeView;

    open spec fn view(&self) -> NodeView {
        match self {
            HTMLNode::Text(t) => NodeView {
                links: t.html_node_base@,
                content: NodeContent::Text { content: t.content@ },
            },
            HTMLNode::Element(ElementInner::Anchor(a)) => NodeView {
                links: a.html_node_base@,
                content: NodeContent::Anchor { href: a.atrr.href_view(), attrs: a.atrr.attr_base@ },
            },
            HTMLNode::Base(b) => NodeView { links: b@, content: NodeContent::Bare },
        }
    }
}

impl HTMLNodeInnerT for HTMLNode {
    open spec fn links(&self) -> NodeLinks {
        self@.links
    }

    fn as_html_node_inner(&self) -> (r: &HTMLNodeBaseInner) {
        match self {
            HTMLNode::Text(t) => t.as_html_node_inner(),
            HTMLNode::Element(e) => e.as_html_node_inner(),
            HTMLNode::Base(b) => b,
        }
    }
}

impl HTMLNode {
    /// Adds a detached text leaf to `tree` and returns its index.
    pub fn create_text(tree: &mut HTMLTree, content: &str) -> (r: usize)
        requires
            old(tree).wf(),
            old(tree)@.len() < usize::MAX,
        ensures
            final(tree).wf(),
            r == old(tree)@.len(),
            final(tree)@ == old(tree)@.push(text_view(content@)),
            final(tree).markup(r as int) == content@,
    {
        let r = tree.push_node(create_text_impl(content));
        assert(tree@[r as int] == tree@[r as int]);
        r
    }

    /// Adds a detached anchor to `tree`, with a text child holding `content`
    /// if one is given, and returns the anchor's index.
    pub fn create_anchor(tree: &mut HTMLTree, content: Option<&str>, href: Option<&str>) -> (r: usize)
        requires
            old(tree).wf(),
            old(tree)@.len() + 2 <= usize::MAX,
        ensures
            final(tree).wf(),
            r == old(tree)@.len(),
            final(tree)@ == old(tree)@ + AnchorBuilder::built_nodes(r as int, AnchorConfig::plain(content, href)),
            final(tree).markup(r as int) == AnchorBuilder::built_markup(AnchorConfig::plain(content, href)),
    {
        create_anchor_impl(tree, content, href)
    }

    /// Adds a detached bare record to `tree` and returns its index.
    pub fn create_base(tree: &mut HTMLTree, leaf: bool) -> (r: usize)
        requires
            old(tree).wf(),
            old(tree)@.len() < usize::MAX,
        ensures
            final(tree).wf(),
            r == old(tree)@.len(),
            final(tree)@ == old(tree)@.push(
                NodeView {
                    links: NodeLinks { parent: None, children: Seq::empty(), leaf },
                    content: NodeContent::Bare,
                },
            ),
            final(tree).markup(r as int) == Seq::<char>::empty(),
    {
        let r = tree.push_node(HTMLNode::Base(HTMLNodeBaseInner::new(leaf)));
        assert(tree@[r as int] == tree@[r as int]);
        r
    }

    /// The node's link record, for the tree's mutation protocol.
    pub(crate) fn as_html_node_inner_mut(&mut self) -> (r: &mut HTMLNodeBaseInner)
        ensures
            r@ == old(self)@.links,
            final(self)@ == (NodeView { links: final(r)@, content: old(self)@.content }),
    {
        match self {
            HTMLNode::Text(t) => &mut t.html_node_base,
            HTMLNode::Element(ElementInner::Anchor(a)) => &mut a.html_node_base,
            HTMLNode::Base(b) => b,
        }
    }
}

} // verus!
