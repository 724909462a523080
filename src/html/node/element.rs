pub mod anchor;
pub mod attribute;
pub mod keys;

use vstd::prelude::*;

use crate::html::node::element::anchor::AnchorElementInner;
use crate::html::{HTMLNodeBaseInner, HTMLNodeInnerT, NodeLinks};

verus! {

/// The element kinds.
pub enum ElementInner {
    Anchor(AnchorElementInner),
}

impl HTMLNodeInnerT for ElementInner {
    open spec fn links(&self) -> NodeLinks {
        match self {
            ElementInner::Anchor(a) => a.links(),
        }
    }

    fn as_html_node_inner(&self) -> (r: &HTMLNodeBaseInner) {
        match self {
            ElementInner::Anchor(a) => a.as_html_node_inner(),
        }
    }
}

} // verus!
