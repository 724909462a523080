use vstd::prelude::*;

use crate::html::node::element::attribute::{keys_sorted, opt_view, upsert, AttributeBase};
use crate::html::node::element::ElementInner;
use crate::html::node::text::{create_text_impl, text_view};
use crate::html::node::{HTMLNode, NodeContent, NodeView};
use crate::html::tree::{without, HTMLTree};
use crate::html::{HTMLNodeBaseInner, HTMLNodeInnerT, NodeLinks};

pub use crate::html::node::element::attribute::{attr_markup, AttrView};

verus! {

/// Attributes of an anchor: its target and the common attribute set.
pub struct AnchorAttribute {
    pub href: Option<String>,
    pub attr_base: AttributeBase,
}

impl AnchorAttribute {
    pub open spec fn href_view(&self) -> Option<Seq<char>> {
        opt_view(self.href)
    }
}

/// An anchor element.
pub struct AnchorElementInner {
    pub html_node_base: HTMLNodeBaseInner,
    pub atrr: AnchorAttribute,
}

pub open spec fn href_markup(href: Option<Seq<char>>) -> Seq<char> {
    match href {
        Some(v) => " href=\""@ + v + "\""@,
        None => Seq::empty(),
    }
}

/// The opening tag of an anchor.
pub open spec fn anchor_open(href: Option<Seq<char>>, attrs: AttrView) -> Seq<char> {
    "<a"@ + href_markup(href) + attr_markup(attrs) + ">"@
}

impl HTMLNodeInnerT for AnchorElementInner {
    open spec fn links(&self) -> NodeLinks {
        self.html_node_base@
    }

    fn as_html_node_inner(&self) -> (r: &HTMLNodeBaseInner) {
        &self.html_node_base
    }
}

impl AnchorElementInner {
    /// The opening tag: `<a`, the target, the attribute set, `>`.
    pub fn render_open_tag(&self) -> (r: String)
        ensures
            r@ == anchor_open(self.atrr.href_view(), self.atrr.attr_base@),
    {
        let mut res = String::from_str("<a");
        match &self.atrr.href {
            Some(v) => {
                res.append(" href=\"");
                res.append(v.as_str());
                res.append("\"");
            },
            None => {},
        }
        let attrs = self.atrr.attr_base.render_attr_base();
        res.append(attrs.as_str());
        res.append(">");
        assert(res@ =~= anchor_open(self.atrr.href_view(), self.atrr.attr_base@));
        res
    }
}

/// What an anchor builder has gathered.
pub ghost struct AnchorConfig {
    pub href: Option<Seq<char>>,
    pub content: Option<Seq<char>>,
    pub attrs: AttrView,
}

pub open spec fn str_opt_view(o: Option<&str>) -> Option<Seq<char>> {
    match o {
        Some(s) => Some(s@),
        None => None,
    }
}

impl AnchorConfig {
    /// A configuration with a target and content only.
    pub open spec fn plain(content: Option<&str>, href: Option<&str>) -> AnchorConfig {
        AnchorConfig {
            href: str_opt_view(href),
            content: str_opt_view(content),
            attrs: AttrView { class: Seq::empty(), id: None, data: Seq::empty() },
        }
    }
}

/// Fluent construction of an anchor; the node is made by `build`.
pub struct AnchorBuilder {
    href: Option<String>,
    content: Option<String>,
    attrs: AttributeBase,
}

impl View for AnchorBuilder {
    type V = AnchorConfig;

    closed spec fn view(&self) -> AnchorConfig {
        AnchorConfig { href: opt_view(self.href), content: opt_view(self.content), attrs: self.attrs@ }
    }
}

impl AnchorBuilder {
    pub closed spec fn wf(&self) -> bool {
        self.attrs.wf()
    }

    /// A well-formed builder keeps its data attributes in key order.
    pub proof fn lemma_data_sorted(&self)
        requires
            self.wf(),
        ensures
            keys_sorted(self@.attrs.data),
    {
    }

    /// The nodes that `build` appends when the anchor gets index `r`: the
    /// anchor, then its text child if content was set.
    pub open spec fn built_nodes(r: int, cfg: AnchorConfig) -> Seq<NodeView> {
        let anchor = |children: Seq<usize>|
            NodeView {
                links: NodeLinks { parent: None, children, leaf: false },
                content: NodeContent::Anchor { href: cfg.href, attrs: cfg.attrs },
            };
        match cfg.content {
            None => seq![anchor(Seq::empty())],
            Some(t) => seq![
                anchor(seq![(r + 1) as usize]),
                NodeView { links: NodeLinks { parent: Some(r as usize), ..text_view(t).links }, ..text_view(t) },
            ],
        }
    }

    /// The markup of a built anchor.
    pub open spec fn built_markup(cfg: AnchorConfig) -> Seq<char> {
        anchor_open(cfg.href, cfg.attrs) + match cfg.content {
            Some(t) => t,
            None => Seq::empty(),
        } + "</a>"@
    }

    /// A builder with nothing set.
    pub fn new() -> (r: Self)
        ensures
            r.wf(),
            r@ == (AnchorConfig {
                href: None,
                content: None,
                attrs: AttrView { class: Seq::empty(), id: None, data: Seq::empty() },
            }),
    {
        AnchorBuilder { href: None, content: None, attrs: AttributeBase::new() }
    }

    pub fn add_class(self, name: &str) -> (r: Self)
        requires
            self.wf(),
        ensures
            r.wf(),
            r@ == (AnchorConfig { attrs: AttrView { class: self@.attrs.class.push(name@), ..self@.attrs }, ..self@ }),
    {
        let mut b = self;
        b.attrs.add_class(String::from_str(name));
        b
    }

    pub fn set_id(self, id: &str) -> (r: Self)
        requires
            self.wf(),
        ensures
            r.wf(),
            r@ == (AnchorConfig { attrs: AttrView { id: Some(id@), ..self@.attrs }, ..self@ }),
    {
        let mut b = self;
        b.attrs.set_id(String::from_str(id));
        b
    }

    pub fn add_data_attr(self, key: &str, value: &str) -> (r: Self)
        requires
            self.wf(),
        ensures
            r.wf(),
            r@ == (AnchorConfig {
                attrs: AttrView { data: upsert(self@.attrs.data, key@, value@), ..self@.attrs },
                ..self@
            }),
    {
        let mut b = self;
        b.attrs.add_data_attr(String::from_str(key), String::from_str(value));
        b
    }

    pub fn set_href(self, url: &str) -> (r: Self)
        requires
            self.wf(),
        ensures
            r.wf(),
            r@ == (AnchorConfig { href: Some(url@), ..self@ }),
    {
        let mut b = self;
        b.href = Some(String::from_str(url));
        b
    }

    pub fn set_content(self, text: &str) -> (r: Self)
        requires
            self.wf(),
        ensures
            r.wf(),
            r@ == (AnchorConfig { content: Some(text@), ..self@ }),
    {
        let mut b = self;
        b.content = Some(String::from_str(text));
        b
    }

    /// Adds the anchor, and its text child if content was set, to `tree`;
    /// returns the anchor's index.
    pub fn build(self, tree: &mut HTMLTree) -> (r: usize)
        requires
            self.wf(),
            old(tree).wf(),
            old(tree)@.len() + 2 <= usize::MAX,
        ensures
            final(tree).wf(),
            r == old(tree)@.len(),
            final(tree)@ == old(tree)@ + Self::built_nodes(r as int, self@),
            final(tree).markup(r as int) == Self::built_markup(self@),
    {
        let ghost cfg = self@;
        let ghost before = tree@;
        let AnchorBuilder { href, content, attrs } = self;
        let anchor = AnchorElementInner {
            html_node_base: HTMLNodeBaseInner::new(false),
            atrr: AnchorAttribute { href, attr_base: attrs },
        };
        let r = tree.push_node(HTMLNode::Element(ElementInner::Anchor(anchor)));
        match content {
            None => {
                proof {
                    let t = *tree;
                    assert(t@ =~= before + Self::built_nodes(r as int, cfg));
                    assert(t@[r as int] == t@[r as int]);
                    assert(t.children_markup(r as int, 0) == Seq::<char>::empty());
                    assert(t.markup(r as int) =~= Self::built_markup(cfg));
                }
            },
            Some(text) => {
                let ghost mid = tree@;
                let c = tree.push_node(create_text_impl(text.as_str()));
                let ghost pushed = *tree;
                let res = tree.add_child(r, c);
                proof {
                    assert(pushed@[r as int] == pushed@[r as int]);
                    assert(pushed@[c as int] == pushed@[c as int]);
                    assert(!pushed.is_ancestor(c as int, r as int));
                    assert(res is Ok);
                    let t = *tree;
                    assert(without(Seq::<usize>::empty(), c) =~= Seq::<usize>::empty());
                    assert(t@ =~= before + Self::built_nodes(r as int, cfg));
                    assert(t@[r as int] == t@[r as int]);
                    assert(t@[c as int] == t@[c as int]);
                    assert(t.children_of(r as int) =~= seq![c]);
                    assert(t.markup(c as int) == text@);
                    assert(t.children_markup(r as int, 0) == Seq::<char>::empty());
                    assert(t.children_markup(r as int, 1) =~= text@);
                    assert(t.markup(r as int) =~= Self::built_markup(cfg));
                }
            },
        }
        r
    }
}

/// Adds an anchor with the given content and target to `tree`.
pub fn create_anchor_impl(tree: &mut HTMLTree, content: Option<&str>, href: Option<&str>) -> (r: usize)
    requires
        old(tree).wf(),
        old(tree)@.len() + 2 <= usize::MAX,
    ensures
        final(tree).wf(),
        r == old(tree)@.len(),
        final(tree)@ == old(tree)@ + AnchorBuilder::built_nodes(r as int, AnchorConfig::plain(content, href)),
        final(tree).markup(r as int) == AnchorBuilder::built_markup(AnchorConfig::plain(content, href)),
{
    let mut b = AnchorBuilder::new();
    match href {
        Some(h) => {
            b = b.set_href(h);
        },
        None => {},
    }
    match content {
        Some(t) => {
            b = b.set_content(t);
        },
        None => {},
    }
    assert(b@ == AnchorConfig::plain(content, href));
    b.build(tree)
}

} // verus!
