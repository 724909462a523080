use vstd::prelude::*;

use crate::html::node::{HTMLNode, NodeContent, NodeView};
use crate::html::{HTMLNodeBaseInner, HTMLNodeInnerT, NodeLinks};

verus! {

/// A text leaf: its content is rendered verbatim.
pub struct TextInner {
    pub html_node_base: HTMLNodeBaseInner,
    pub content: String,
}

impl HTMLNodeInnerT for TextInner {
    open spec fn links(&self) -> NodeLinks {
        self.html_node_base@
    }

    fn as_html_node_inner(&self) -> (r: &HTMLNodeBaseInner) {
        &self.html_node_base
    }
}

/// A detached text leaf.
pub open spec fn text_view(content: Seq<char>) -> NodeView {
    NodeView {
        links: NodeLinks { parent: None, children: Seq::empty(), leaf: true },
        content: NodeContent::Text { content },
    }
}

/// A detached text node holding `content`.
pub fn create_text_impl(content: &str) -> (r: HTMLNode)
    ensures
        r@ == text_view(content@),
{
    HTMLNode::Text(TextInner { html_node_base: HTMLNodeBaseInner::new(true), content: String::from_str(content) })
}

} // verus!
